use vstd::prelude::*;

verus! {

/// A counting semaphore. The count is capped at `u8::MAX`: a release at the cap leaves it
/// there.
#[derive(Clone, Copy, PartialEq, Eq, Structural, Debug)]
pub struct Semaphore {
    pub count: u8,
}

impl Semaphore {
    pub fn new(initial: u8) -> (r: Semaphore)
        ensures
            r.count == initial,
    {
        Semaphore { count: initial }
    }

    /// Takes one unit when one is available; reports whether it did.
    pub fn acquire(&mut self) -> (r: bool)
        ensures
            (r, *final(self)) == acquire_spec(*old(self)),
    {
        let current = self.count;
        if current > 0 {
            self.count = current - 1;
            true
        } else {
            false
        }
    }

    /// Gives back one unit.
    pub fn release(&mut self)
        ensures
            *final(self) == release_spec(*old(self)),
    {
        self.count = self.count.saturating_add(1);
    }
}

/// Outcome of `acquire` on `s`: whether it succeeded, and the semaphore afterwards.
pub open spec fn acquire_spec(s: Semaphore) -> (bool, Semaphore) {
    if s.count > 0 {
        (true, Semaphore { count: (s.count - 1) as u8 })
    } else {
        (false, s)
    }
}

/// The semaphore after `release` on `s`.
pub open spec fn release_spec(s: Semaphore) -> Semaphore {
    if s.count < u8::MAX {
        Semaphore { count: (s.count + 1) as u8 }
    } else {
        s
    }
}

/// The semaphore after `k` calls of `acquire` on `s`.
pub open spec fn after_acquires(s: Semaphore, k: nat) -> Semaphore
    decreases k,
{
    if k == 0 {
        s
    } else {
        acquire_spec(after_acquires(s, (k - 1) as nat)).1
    }
}

proof fn lemma_after_acquires(n: u8, k: nat)
    requires
        k <= n,
    ensures
        after_acquires(Semaphore { count: n }, k).count == n - k,
    decreases k,
{
    if k > 0 {
        lemma_after_acquires(n, (k - 1) as nat);
    }
}

/// A semaphore created with count `n` grants exactly `n` consecutive acquires; the next one
/// fails, and a release then lets exactly one more succeed.
pub proof fn lemma_acquire_count(n: u8)
    ensures
        forall|k: nat| k < n ==> (#[trigger] acquire_spec(after_acquires(Semaphore { count: n }, k))).0,
        !acquire_spec(after_acquires(Semaphore { count: n }, n as nat)).0,
        acquire_spec(release_spec(after_acquires(Semaphore { count: n }, n as nat))).0,
        !acquire_spec(acquire_spec(release_spec(after_acquires(Semaphore { count: n }, n as nat))).1).0,
{
    assert forall|k: nat| k < n implies (#[trigger] acquire_spec(after_acquires(Semaphore { count: n }, k))).0 by {
        lemma_after_acquires(n, k);
    }
    lemma_after_acquires(n, n as nat);
}

} // verus!
