//! The retry schedule of lookups at the movie database and image downloads:
//! at most three attempts, the k-th retry after a pause of 2^k seconds.

use vstd::prelude::*;

verus! {

/// How many attempts a lookup gets.
pub const MAX_ATTEMPTS: u32 = 3;

/// Two to the power `n`.
pub open spec fn two_pow(n: nat) -> nat
    decreases n,
{
    if n == 0 {
        1
    } else {
        2 * two_pow((n - 1) as nat)
    }
}

/// Seconds to wait before attempt number `attempt` (counted from 0): none
/// before the first, 2^attempt before each later one.
pub open spec fn backoff_secs(attempt: nat) -> nat {
    if attempt == 0 {
        0
    } else {
        two_pow(attempt)
    }
}

/// What the schedule says after `made` attempts have failed: the pause
/// before the next attempt, or `None` once all attempts are spent.
pub open spec fn schedule(made: nat) -> Option<nat> {
    if made < MAX_ATTEMPTS {
        Some(backoff_secs(made))
    } else {
        None
    }
}

/// The attempts made so far on one lookup.
pub struct Retry {
    made: u32,
}

impl Retry {
    /// Attempts made so far.
    pub closed spec fn attempts(&self) -> nat {
        self.made as nat
    }

    /// A schedule on which no attempt has been made yet.
    pub fn new() -> (r: Retry)
        ensures
            r.attempts() == 0,
    {
        Retry { made: 0 }
    }

    /// The pause in seconds before the next attempt, which it counts as
    /// made; `None`, and no change, once all attempts are spent.
    pub fn next_attempt(&mut self) -> (pause: Option<u64>)
        ensures
            match schedule(old(self).attempts()) {
                Some(s) => pause == Some(s as u64) && final(self).attempts() == old(
                    self,
                ).attempts() + 1,
                None => pause is None && final(self).attempts() == old(self).attempts(),
            },
    {
        if self.made >= MAX_ATTEMPTS {
            return None;
        }
        let mut secs: u64 = 1;
        if self.made > 0 {
            let mut k: u32 = 0;
            while k < self.made
                invariant
                    k <= self.made < MAX_ATTEMPTS,
                    secs == two_pow(k as nat),
                    secs <= 4,
                decreases self.made - k,
            {
                assert(two_pow(0) == 1);
                assert(two_pow(1) == 2);
                secs = secs * 2;
                k += 1;
                assert(two_pow(k as nat) == 2 * two_pow((k - 1) as nat));
            }
        } else {
            secs = 0;
        }
        self.made = self.made + 1;
        Some(secs)
    }
}


/// A lookup gets three attempts: the first at once, the second after two
/// seconds, the third after four more; after three failed attempts the
/// schedule gives up.
pub proof fn lemma_retry_schedule()
    ensures
        schedule(0) == Some(0nat),
        schedule(1) == Some(2nat),
        schedule(2) == Some(4nat),
        forall|made: nat| made >= MAX_ATTEMPTS ==> #[trigger] schedule(made) is None,
{
    assert(two_pow(0) == 1);
    assert(two_pow(1) == 2);
    assert(two_pow(2) == 4);
}

} // verus!
