//! How loops of one machine take turns.
use vstd::arithmetic::div_mod::{
    lemma_add_mod_noop, lemma_mod_add_multiples_vanish, lemma_mod_self_0, lemma_small_mod,
};
use vstd::prelude::*;

verus! {

/// Lets one loop of a machine yield to another.
///
/// Where two loops compete, the one that is polled first can keep the other from ever running. It
/// can yield until the other has had its turn; the other has to unblock it then.
#[derive(Debug)]
pub struct AsyncYielder {
    // How often the other loop has had its turn.
    num_polls: usize,
}

impl Default for AsyncYielder {
    fn default() -> (r: Self)
        ensures
            r.turns() == 0,
    {
        AsyncYielder { num_polls: 0 }
    }
}

impl AsyncYielder {
    /// How often the other loop has had its turn. The count starts again at zero when it overflows.
    pub closed spec fn turns(&self) -> usize {
        self.num_polls
    }

    /// A future that is ready as soon as the other loop has had its turn.
    pub fn yield_now(&self) -> (r: YieldNow)
        ensures
            r == YieldNow::Unpolled,
    {
        YieldNow::Unpolled
    }

    /// Tells that a turn is over. It allows the loops that yielded before to run again.
    pub fn unblock(&mut self)
        ensures
            final(self).turns() == turns_after(old(self).turns(), 1),
    {
        proof {
            if self.num_polls < usize::MAX {
                lemma_small_mod((self.num_polls + 1) as nat, (usize::MAX + 1) as nat);
            } else {
                lemma_mod_self_0(usize::MAX + 1);
            }
        }
        self.num_polls = self.num_polls.wrapping_add(1);
    }
}

/// The count of turns after `n` more. It starts again at zero when it overflows.
pub open spec fn turns_after(turns: usize, n: nat) -> usize {
    ((turns + n) % (usize::MAX + 1)) as usize
}

/// Turns add up, however often the count overflows.
pub proof fn lemma_turns_add(turns: usize, a: nat, b: nat)
    ensures
        turns_after(turns_after(turns, a), b) == turns_after(turns, a + b),
{
    let m = usize::MAX + 1;
    lemma_add_mod_noop(turns + a, b as int, m);
    lemma_add_mod_noop((turns + a) % m, b as int, m);
    lemma_small_mod(((turns + a) % m) as nat, m as nat);
}

/// A loop that has yielded is ready as soon as the other one has had its turn, and stays so for as
/// many turns as can be counted.
pub proof fn lemma_ready_after_turns(turns: usize, n: nat)
    requires
        0 < n <= usize::MAX,
    ensures
        turns_after(turns, n) != turns,
{
    let m = usize::MAX + 1;
    if turns + n < m {
        lemma_small_mod((turns + n) as nat, m as nat);
    } else {
        lemma_mod_add_multiples_vanish(turns + n - m, m);
        lemma_small_mod((turns + n - m) as nat, m as nat);
    }
}

/// A future that waits for the other loop to have its turn.
#[derive(Debug)]
pub enum YieldNow {
    /// Not polled yet.
    Unpolled,
    /// Waiting since the count of turns was this.
    Waiting(usize),
    /// Done.
    Finished,
}

impl YieldNow {
    /// Goes on as far as it can. False means that the future still waits.
    pub fn poll(&mut self, yielder: &AsyncYielder) -> (r: bool)
        requires
            !(*old(self) is Finished),
        ensures
            match *old(self) {
                YieldNow::Unpolled => !r && *final(self) == YieldNow::Waiting(yielder.turns()),
                YieldNow::Waiting(turns) => {
                    &&& r == (turns != yielder.turns())
                    &&& *final(self) == if r {
                        YieldNow::Finished
                    } else {
                        *old(self)
                    }
                },
                YieldNow::Finished => true,
            },
    {
        if let YieldNow::Unpolled = &*self {
            *self = YieldNow::Waiting(yielder.num_polls);
        }
        let ready = match &*self {
            // The count may overflow, so neither `<=` nor `>=` would do.
            YieldNow::Waiting(since) => yielder.num_polls != *since,
            _ => false,
        };
        if ready {
            *self = YieldNow::Finished;
        }
        ready
    }
}

} // verus!
