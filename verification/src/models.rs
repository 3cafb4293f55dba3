//! The load-balancing data model: backend addresses, servers with a
//! health flag, and the shared target pool with its rotating cursor.
//!
//! `Targets::next_available_server` is the selection policy: starting at
//! the cursor it scans the servers in round-robin order, returns the
//! first healthy one and advances the cursor just past it; when no
//! server is healthy it still returns the last server scanned (degraded
//! fallback) and leaves the cursor where advancing past that server
//! lands it, which is its old position.

use vstd::prelude::*;
use vstd::arithmetic::div_mod::lemma_add_mod_noop;
use vstd::arithmetic::div_mod::lemma_mod_bound;
use vstd::arithmetic::div_mod::lemma_mod_multiples_vanish;
use vstd::arithmetic::div_mod::lemma_small_mod;
use vstd::string::StringExecFns;
use crate::text::decimal;
use crate::text::u64_to_string;

verus! {

/// A resolved backend endpoint: host (an IP literal or name) and port.
#[derive(Debug, PartialEq, Eq)]
pub struct Address {
    pub host: String,
    pub port: u16,
}

impl Clone for Address {
    fn clone(&self) -> (res: Address)
        ensures
            res == *self,
    {
        Address { host: self.host.clone(), port: self.port }
    }
}

impl Address {
    /// The usual `host:port` rendering of the address.
    pub open spec fn spec_text(self) -> Seq<char> {
        self.host@ + ":"@ + decimal(self.port as nat)
    }

    pub fn to_text(&self) -> (r: String)
        ensures
            r@ == self.spec_text(),
    {
        let mut r = self.host.clone();
        r.append(":");
        let port = u64_to_string(self.port as u64);
        r.append(port.as_str());
        r
    }
}

/// One backend server: its address and its last known health status.
/// The health flag is written only by the server's health-check loop.
#[derive(Debug, PartialEq, Eq)]
pub struct Server {
    pub uri: Address,
    pub healthy: bool,
}

impl Server {
    pub fn new(uri: Address) -> (s: Server)
        ensures
            s.uri == uri,
            s.healthy,
    {
        Server { uri, healthy: true }
    }

    /// The URL probed by the health checker for this server.
    pub open spec fn spec_check_status_address(self) -> Seq<char> {
        "http://"@ + self.uri.spec_text() + "/private/status"@
    }

    pub fn check_status_address(&self) -> (r: String)
        ensures
            r@ == self.spec_check_status_address(),
    {
        let mut r = "http://".to_owned();
        let addr = self.uri.to_text();
        r.append(addr.as_str());
        r.append("/private/status");
        r
    }
}

/// The shared pool: an ordered, fixed sequence of servers and the
/// round-robin cursor.
#[derive(Debug, PartialEq, Eq)]
pub struct Targets {
    pub servers: Vec<Server>,
    pub curr: usize,
}

impl Targets {
    /// A usable pool is non-empty and its cursor is a valid index.
    pub open spec fn wf(self) -> bool {
        self.servers@.len() > 0 && self.curr < self.servers@.len()
    }

    /// The index scanned `k` steps after the cursor, wrapping around.
    pub open spec fn slot(self, k: int) -> int {
        (self.curr + k) % (self.servers@.len() as int)
    }

    /// The smallest offset `k` in `[from, len)` whose slot holds a
    /// healthy server, if any.
    pub open spec fn first_healthy_from(self, from: int) -> Option<int>
        decreases self.servers@.len() - from,
    {
        if from >= self.servers@.len() {
            None
        } else if self.servers@[self.slot(from)].healthy {
            Some(from)
        } else {
            self.first_healthy_from(from + 1)
        }
    }

    /// The offset of the first healthy server at or after the cursor.
    pub open spec fn first_healthy(self) -> Option<int> {
        self.first_healthy_from(0)
    }

    /// The index a selection returns: the first healthy slot, or, when
    /// every server is unhealthy, the last slot scanned.
    pub open spec fn selected_slot(self) -> int {
        match self.first_healthy() {
            Some(k) => self.slot(k),
            None => self.slot(self.servers@.len() - 1),
        }
    }

    /// The address a selection returns.
    pub open spec fn selected_address(self) -> Address {
        self.servers@[self.selected_slot()].uri
    }

    /// The cursor after a selection: one step past the returned slot.
    /// When nothing is healthy the last slot scanned is just before the
    /// cursor, so advancing past it brings the cursor back where it was.
    pub open spec fn cursor_after(self) -> int {
        match self.first_healthy() {
            Some(k) => (self.slot(k) + 1) % (self.servers@.len() as int),
            None => self.curr as int,
        }
    }

    /// The whole pool after one selection.
    pub open spec fn after_select(self) -> Targets {
        Targets { servers: self.servers, curr: self.cursor_after() as usize }
    }

    /// Every server in the pool is marked healthy.
    pub open spec fn all_healthy(self) -> bool {
        forall|i: int| 0 <= i < self.servers@.len() ==> self.servers@[i].healthy
    }

    /// At least one server in the pool is marked healthy.
    pub open spec fn some_healthy(self) -> bool {
        exists|i: int| 0 <= i < self.servers@.len() && self.servers@[i].healthy
    }

    /// Build the pool from the configured address list; every server
    /// starts out unhealthy until its first probe succeeds, and the
    /// cursor starts at the first server.
    pub fn new(uris: Vec<Address>) -> (t: Targets)
        ensures
            t.curr == 0,
            t.servers@.len() == uris@.len(),
            forall|i: int|
                0 <= i < uris@.len() ==> t.servers@[i] == (Server {
                    uri: uris@[i],
                    healthy: false,
                }),
    {
        let mut servers: Vec<Server> = Vec::new();
        let mut i: usize = 0;
        while i < uris.len()
            invariant
                i <= uris@.len(),
                servers@.len() == i,
                forall|j: int|
                    0 <= j < i ==> servers@[j] == (Server { uri: uris@[j], healthy: false }),
            decreases uris@.len() - i,
        {
            let uri = uris[i].clone();
            servers.push(Server { uri, healthy: false });
            i += 1;
        }
        Targets { servers, curr: 0 }
    }

    /// Select a target for one inbound connection: the round-robin scan
    /// with skip-unhealthy and degraded fallback described above.
    pub fn next_available_server(&mut self) -> (a: Address)
        requires
            old(self).wf(),
        ensures
            final(self).servers == old(self).servers,
            final(self).curr as int == old(self).cursor_after(),
            a == old(self).selected_address(),
            *final(self) == old(self).after_select(),
            final(self).wf(),
    {
        let len = self.servers.len();
        let start = self.curr;
        let mut i: usize = 0;
        while i < len
            invariant
                old(self).wf(),
                *self == *old(self),
                len == self.servers@.len(),
                start == self.curr,
                i <= len,
                forall|k: int| 0 <= k < i ==> !self.servers@[#[trigger] self.slot(k)].healthy,
                old(self).first_healthy() == old(self).first_healthy_from(i as int),
            decreases len - i,
        {
            let idx = if i < len - start {
                start + i
            } else {
                i - (len - start)
            };
            proof {
                lemma_slot_char(*self, i as int);
                assert(idx as int == self.slot(i as int));
            }
            if self.servers[idx].healthy {
                proof {
                    assert(old(self).first_healthy_from(i as int) == Some(i as int));
                }
                let next_curr = if idx + 1 == len {
                    0
                } else {
                    idx + 1
                };
                proof {
                    let n = len as int;
                    if idx + 1 == len {
                        lemma_mod_multiples_vanish(1, 0, n);
                        lemma_small_mod(0, n as nat);
                    } else {
                        lemma_small_mod((idx + 1) as nat, n as nat);
                    }
                    assert(next_curr as int == (self.slot(i as int) + 1) % n);
                }
                let a = self.servers[idx].uri.clone();
                self.curr = next_curr;
                return a;
            }
            i += 1;
        }
        // no healthy server: fall back to the last server scanned,
        // which sits just before the starting cursor
        proof {
            assert(old(self).first_healthy() is None);
            lemma_slot_char(*self, len - 1);
        }
        let idx = if start == 0 {
            len - 1
        } else {
            start - 1
        };
        self.servers[idx].uri.clone()
    }
}

/// The pool after `n` selections in a row, with no health change in
/// between.
pub open spec fn iterate_select(t: Targets, n: nat) -> Targets
    decreases n,
{
    if n == 0 {
        t
    } else {
        iterate_select(t, (n - 1) as nat).after_select()
    }
}

proof fn lemma_first_healthy_some(t: Targets, from: int, k: int)
    requires
        t.wf(),
        0 <= from,
        t.first_healthy_from(from) == Some(k),
    ensures
        from <= k < t.servers@.len(),
        t.servers@[t.slot(k)].healthy,
    decreases t.servers@.len() - from,
{
    if from < t.servers@.len() && !t.servers@[t.slot(from)].healthy {
        lemma_first_healthy_some(t, from + 1, k);
    }
}

proof fn lemma_first_healthy_none(t: Targets, from: int)
    requires
        t.wf(),
        0 <= from,
        t.first_healthy_from(from) is None,
    ensures
        forall|k: int| from <= k < t.servers@.len() ==> !t.servers@[#[trigger] t.slot(k)].healthy,
    decreases t.servers@.len() - from,
{
    if from < t.servers@.len() {
        lemma_first_healthy_none(t, from + 1);
    }
}

proof fn lemma_all_unhealthy_none(t: Targets, from: int)
    requires
        t.wf(),
        0 <= from,
        !t.some_healthy(),
    ensures
        t.first_healthy_from(from) is None,
    decreases t.servers@.len() - from,
{
    let n = t.servers@.len() as int;
    if from < n {
        lemma_mod_bound(t.curr + from, n);
        assert(!t.servers@[t.slot(from)].healthy);
        lemma_all_unhealthy_none(t, from + 1);
    }
}

/// Scanning offsets cover every index: the server at index `i` is
/// scanned at offset `i - curr`, wrapped into `[0, len)`.
proof fn lemma_slot_covers(t: Targets, i: int)
    requires
        t.wf(),
        0 <= i < t.servers@.len(),
    ensures
        exists|k: int| 0 <= k < t.servers@.len() && #[trigger] t.slot(k) == i,
{
    let n = t.servers@.len() as int;
    let k = if i >= t.curr {
        i - t.curr
    } else {
        i + n - t.curr
    };
    lemma_slot_char(t, k);
    assert(t.slot(k) == i);
}

/// Skip-unhealthy: as long as any server is healthy, a selection
/// returns a healthy server's address — an unhealthy server is never
/// chosen while a healthy one exists.
pub proof fn lemma_skip_unhealthy(t: Targets)
    requires
        t.wf(),
        t.some_healthy(),
    ensures
        t.first_healthy() is Some,
        0 <= t.selected_slot() < t.servers@.len(),
        t.servers@[t.selected_slot()].healthy,
        t.selected_address() == t.servers@[t.selected_slot()].uri,
{
    let n = t.servers@.len() as int;
    match t.first_healthy() {
        Some(k) => {
            lemma_first_healthy_some(t, 0, k);
            lemma_mod_bound(t.curr + k, n);
        },
        None => {
            lemma_first_healthy_none(t, 0);
            let i = choose|i: int| 0 <= i < n && t.servers@[i].healthy;
            lemma_slot_covers(t, i);
            assert(false);
        },
    }
}

/// Degraded fallback: when every server is unhealthy, a selection
/// still returns an address — the last server scanned in the
/// round-robin sweep, the one just before the cursor — and the cursor
/// comes back to where it started.
pub proof fn lemma_degraded_fallback(t: Targets)
    requires
        t.wf(),
        !t.some_healthy(),
    ensures
        t.first_healthy() is None,
        t.selected_address() == t.servers@[t.slot(t.servers@.len() - 1)].uri,
        t.after_select().curr == t.curr,
        t.after_select().servers == t.servers,
{
    lemma_all_unhealthy_none(t, 0);
}

proof fn lemma_iterate_all_healthy(t: Targets, i: int)
    requires
        t.wf(),
        t.all_healthy(),
        0 <= i < t.servers@.len(),
    ensures
        iterate_select(t, i as nat).servers == t.servers,
        iterate_select(t, i as nat).curr as int == t.slot(i),
        iterate_select(t, i as nat).wf(),
        iterate_select(t, i as nat).all_healthy(),
    decreases i,
{
    let n = t.servers@.len() as int;
    if i == 0 {
        lemma_small_mod(t.curr as nat, n as nat);
    } else {
        lemma_iterate_all_healthy(t, i - 1);
        let u = iterate_select(t, (i - 1) as nat);
        lemma_mod_bound(t.curr + (i - 1), n);
        lemma_small_mod(u.curr as nat, n as nat);
        assert(u.servers@[u.slot(0)].healthy);
        assert(u.first_healthy() == Some(0int));
        assert(u.slot(0) == u.curr as int);
        assert(u.cursor_after() == (u.curr as int + 1) % n);
        lemma_add_mod_noop(t.curr + (i - 1), 1, n);
        lemma_small_mod(1nat, n as nat);
        assert((u.curr as int + 1) % n == (t.curr + i) % n);
        lemma_mod_bound(t.curr + i, n);
        assert(u.servers.len() == u.servers@.len());
        assert(iterate_select(t, i as nat) == u.after_select());
        assert(u.after_select().curr as int == (t.curr + i) % n);
    }
}

/// Round-robin fairness: with every server healthy, the `i`-th of a
/// run of selections returns the server `i` steps after the starting
/// cursor, in insertion order; distinct selections in one full round
/// hit distinct servers, so each server is returned exactly once per
/// round.
pub proof fn lemma_round_robin_fairness(t: Targets, i: int)
    requires
        t.wf(),
        t.all_healthy(),
        0 <= i < t.servers@.len(),
    ensures
        iterate_select(t, i as nat).selected_address() == t.servers@[t.slot(i)].uri,
        forall|j: int|
            0 <= j < t.servers@.len() && j != i ==> #[trigger] t.slot(j) != t.slot(i),
{
    let n = t.servers@.len() as int;
    lemma_iterate_all_healthy(t, i);
    let u = iterate_select(t, i as nat);
    lemma_mod_bound(t.curr + i, n);
    lemma_small_mod(u.curr as nat, n as nat);
    assert(u.servers@[u.slot(0)].healthy);
    assert(u.first_healthy() == Some(0int));
    assert(u.selected_slot() == u.slot(0));
    assert(u.slot(0) == t.slot(i));
    assert forall|j: int|
        0 <= j < t.servers@.len() && j != i implies #[trigger] t.slot(j) != t.slot(i) by {
        lemma_slot_char(t, j);
        lemma_slot_char(t, i);
    }
}

/// `slot` without the modulus: scanning `k` steps from the cursor lands
/// on `curr + k`, wrapped once past the end.
pub proof fn lemma_slot_char(t: Targets, k: int)
    requires
        t.wf(),
        0 <= k < t.servers@.len(),
    ensures
        t.slot(k) == if t.curr + k < t.servers@.len() {
            t.curr + k
        } else {
            t.curr + k - t.servers@.len()
        },
{
    let n = t.servers@.len() as int;
    if t.curr + k < n {
        lemma_small_mod((t.curr + k) as nat, n as nat);
    } else {
        lemma_mod_multiples_vanish(1, t.curr + k - n, n);
        lemma_small_mod((t.curr + k - n) as nat, n as nat);
    }
}

} // verus!
