//! The plain rotation pool: a fixed list of resolved addresses and a
//! cursor that cycles through them without looking at health. Name
//! resolution from configured strings happens outside the library; the
//! pool is built from the already resolved addresses.

use vstd::prelude::*;
use vstd::arithmetic::div_mod::lemma_mod_multiples_vanish;
use vstd::arithmetic::div_mod::lemma_small_mod;
use crate::models::Address;

verus! {

/// A fixed, ordered list of backend addresses with a rotating cursor.
#[derive(Debug, PartialEq, Eq)]
pub struct Targets {
    pub uris: Vec<Address>,
    pub curr: usize,
}

impl Targets {
    /// A usable pool is non-empty and its cursor is a valid index.
    pub open spec fn wf(self) -> bool {
        self.uris@.len() > 0 && self.curr < self.uris@.len()
    }

    /// A pool over the given addresses, cursor at the first. An empty
    /// address list is a fatal configuration error upstream, so a pool
    /// is never built from one.
    pub fn new(uris: Vec<Address>) -> (t: Targets)
        requires
            uris@.len() > 0,
        ensures
            t.uris == uris,
            t.curr == 0,
            t.wf(),
    {
        Targets { uris, curr: 0 }
    }

    /// Return the address under the cursor and advance the cursor one
    /// step, wrapping around at the end of the list.
    pub fn next(&mut self) -> (a: Address)
        requires
            old(self).wf(),
        ensures
            final(self).uris == old(self).uris,
            a == old(self).uris@[old(self).curr as int],
            final(self).curr as int == (old(self).curr + 1) % (old(self).uris@.len() as int),
            final(self).wf(),
    {
        let a = self.uris[self.curr].clone();
        let len = self.uris.len();
        let next_curr = if self.curr + 1 == len {
            0
        } else {
            self.curr + 1
        };
        proof {
            let n = len as int;
            if self.curr + 1 == len {
                lemma_mod_multiples_vanish(1, 0, n);
                lemma_small_mod(0, n as nat);
            } else {
                lemma_small_mod((self.curr + 1) as nat, n as nat);
            }
        }
        self.curr = next_curr;
        a
    }
}

} // verus!
