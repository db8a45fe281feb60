//! A counting limit on how many connections a server handles at once.
//!
//! The pool only decides; whoever shares it between threads holds it under
//! a lock and waits on a condition variable while `take` refuses.

use vstd::prelude::*;

verus! {

pub struct Pool {
    threads: u16,
    concurrency: u16,
}

impl View for Pool {
    /// The number of slots in use and the number of slots.
    type V = (nat, nat);

    closed spec fn view(&self) -> (nat, nat) {
        (self.threads as nat, self.concurrency as nat)
    }
}

/// What a request for a slot does to a pool seen as (slots in use, slots):
/// it is granted when a slot is free, and then one more slot is in use;
/// otherwise nothing changes.
pub open spec fn after_take(v: (nat, nat)) -> (bool, (nat, nat)) {
    if v.0 < v.1 {
        (true, (v.0 + 1, v.1))
    } else {
        (false, v)
    }
}

/// What giving a slot back does to a pool seen as (slots in use, slots).
pub open spec fn after_release(v: (nat, nat)) -> (nat, nat) {
    ((v.0 - 1) as nat, v.1)
}

impl Pool {
    /// No more slots are in use than there are.
    pub open spec fn wf(&self) -> bool {
        self@.0 <= self@.1
    }

    /// A pool of `concurrency` free slots.
    pub fn new(concurrency: u16) -> (p: Self)
        ensures
            p.wf(),
            p@ == (0nat, concurrency as nat),
    {
        Pool { threads: 0, concurrency }
    }

    /// Takes a slot if one is free; a caller that is refused waits for a
    /// `release` and asks again.
    pub fn take(&mut self) -> (taken: bool)
        requires
            old(self).wf(),
        ensures
            final(self).wf(),
            final(self)@.0 <= final(self)@.1,
            (taken, final(self)@) == after_take(old(self)@),
    {
        if self.threads >= self.concurrency {
            false
        } else {
            self.threads = self.threads + 1;
            true
        }
    }

    /// Gives a slot back.
    pub fn release(&mut self)
        requires
            old(self).wf(),
            old(self)@.0 > 0,
        ensures
            final(self).wf(),
            final(self)@.0 <= final(self)@.1,
            final(self)@ == after_release(old(self)@),
    {
        self.threads = self.threads - 1;
    }

    /// The number of slots in use.
    pub fn in_use(&self) -> (n: u16)
        ensures
            n == self@.0,
    {
        self.threads
    }

    /// The number of slots.
    pub fn concurrency(&self) -> (n: u16)
        ensures
            n == self@.1,
    {
        self.concurrency
    }
}

/// From any state with no more slots in use than there are, taking and
/// giving back keep it so: a new pool starts with none in use, so at most
/// `concurrency` callers hold a slot at any time.
pub proof fn lemma_slots_within_limit(v: (nat, nat))
    requires
        v.0 <= v.1,
    ensures
        after_take(v).1.0 <= after_take(v).1.1,
        v.0 > 0 ==> after_release(v).0 <= after_release(v).1,
        !after_take(v).0 ==> v.0 == v.1,
{
}

/// A slot that was taken and given back leaves the pool as it was.
pub proof fn lemma_take_release_restores(v: (nat, nat))
    requires
        v.0 < v.1,
    ensures
        after_take(v).0,
        after_release(after_take(v).1) == v,
{
}

} // verus!
