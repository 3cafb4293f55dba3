//! The health-monitoring decision core. The perpetual probe loop that
//! issues HTTP requests lives outside the library; what is verified
//! here is everything the loop decides: how a probe outcome is
//! classified, how the server's health flag is updated, and when a
//! human-visible transition notice is due — only on a change of state,
//! never on a probe that confirms the state already stored.

use vstd::prelude::*;
use crate::models::Server;

verus! {

/// What one health probe came back with: a response with its status
/// code, or a transport failure (connect error or timeout).
#[derive(Debug, Clone, Copy, PartialEq, Eq)]
pub enum ProbeOutcome {
    Status(u16),
    Failed,
}

impl ProbeOutcome {
    /// A probe counts the server healthy exactly when it got a response
    /// with a success-range status code.
    pub open spec fn spec_healthy(self) -> bool {
        match self {
            ProbeOutcome::Status(code) => 200 <= code < 300,
            ProbeOutcome::Failed => false,
        }
    }
}

/// A change of a server's health state, worth a log line.
#[derive(Debug, Clone, Copy, PartialEq, Eq)]
pub enum HealthTransition {
    BackUp,
    WentDown,
}

/// The notice due when the stored state was `was` and the fresh probe
/// classified the server as `now`: a notice on every edge, none when
/// the state is confirmed.
pub open spec fn spec_transition(was: bool, now: bool) -> Option<HealthTransition> {
    if was && !now {
        Some(HealthTransition::WentDown)
    } else if !was && now {
        Some(HealthTransition::BackUp)
    } else {
        None
    }
}

/// The per-target health monitor. Its probe loop runs outside the
/// library; each iteration hands the probe's outcome to `observe`.
pub struct HealthChecker {}

impl HealthChecker {
    /// Classify a probe outcome.
    pub fn classify(outcome: &ProbeOutcome) -> (healthy: bool)
        ensures
            healthy == outcome.spec_healthy(),
    {
        match outcome {
            ProbeOutcome::Status(code) => 200 <= *code && *code < 300,
            ProbeOutcome::Failed => false,
        }
    }

    /// One monitor iteration's decision: store the fresh classification
    /// in the server's health flag and report the transition notice
    /// due, if any. The address is never touched.
    pub fn observe(server: &mut Server, outcome: &ProbeOutcome) -> (notice: Option<
        HealthTransition,
    >)
        ensures
            final(server).uri == old(server).uri,
            final(server).healthy == outcome.spec_healthy(),
            notice == spec_transition(old(server).healthy, outcome.spec_healthy()),
    {
        let now = Self::classify(outcome);
        let was = server.healthy;
        server.healthy = now;
        if was && !now {
            Some(HealthTransition::WentDown)
        } else if !was && now {
            Some(HealthTransition::BackUp)
        } else {
            None
        }
    }
}

/// The stored health flag after a run of probe outcomes has been
/// observed, starting from `init`: the last outcome's classification,
/// or `init` if nothing was observed yet.
pub open spec fn health_after(init: bool, outs: Seq<ProbeOutcome>) -> bool {
    if outs.len() == 0 {
        init
    } else {
        outs.last().spec_healthy()
    }
}

/// How many down notices a run of probe outcomes produces, starting
/// from stored state `init`.
pub open spec fn down_notice_count(init: bool, outs: Seq<ProbeOutcome>) -> nat
    decreases outs.len(),
{
    if outs.len() == 0 {
        0
    } else {
        down_notice_count(init, outs.drop_last()) + (if spec_transition(
            health_after(init, outs.drop_last()),
            outs.last().spec_healthy(),
        ) == Some(HealthTransition::WentDown) {
            1nat
        } else {
            0nat
        })
    }
}

proof fn lemma_down_notice_prefixes(init: bool, outs: Seq<ProbeOutcome>, n: int, k: int)
    requires
        0 <= n < outs.len(),
        0 <= k <= outs.len(),
        forall|i: int| 0 <= i < n ==> (#[trigger] outs[i]).spec_healthy(),
        forall|i: int| n <= i < outs.len() ==> !(#[trigger] outs[i]).spec_healthy(),
        init || n > 0,
    ensures
        down_notice_count(init, outs.take(k)) == if k <= n {
            0nat
        } else {
            1nat
        },
        health_after(init, outs.take(k)) == if k == 0 {
            init
        } else {
            outs[k - 1].spec_healthy()
        },
    decreases k,
{
    if k > 0 {
        lemma_down_notice_prefixes(init, outs, n, k - 1);
        assert(outs.take(k).drop_last() =~= outs.take(k - 1));
        assert(outs.take(k).last() == outs[k - 1]);
    }
}

/// A server that passes a run of probes and then starts failing is
/// marked unhealthy by the very first failing probe, and the whole
/// failing stretch produces exactly one down notice — the edge is
/// reported once, not on every still-unhealthy probe.
pub proof fn lemma_down_notice_once(init: bool, outs: Seq<ProbeOutcome>, n: int)
    requires
        0 <= n < outs.len(),
        forall|i: int| 0 <= i < n ==> (#[trigger] outs[i]).spec_healthy(),
        forall|i: int| n <= i < outs.len() ==> !(#[trigger] outs[i]).spec_healthy(),
        init || n > 0,
    ensures
        !health_after(init, outs.take(n + 1)),
        down_notice_count(init, outs) == 1,
{
    lemma_down_notice_prefixes(init, outs, n, n + 1);
    lemma_down_notice_prefixes(init, outs, n, outs.len() as int);
    assert(outs.take(outs.len() as int) =~= outs);
}

} // verus!
